use spec_drift::baseline::{subtract, Identity};
use spec_drift::domain::{Divergence, Location, RuleId, Severity};

fn div(rule: RuleId, file: &str, line: u32, stated: &str) -> Divergence {
    Divergence {
        rule,
        severity: Severity::Critical,
        location: Location::new(file, line),
        stated: stated.into(),
        reality: "r".into(),
        risk: "k".into(),
        attribution: None,
    }
}

#[test]
fn subtract_drops_known_divergences() {
    let existing = div(RuleId::SymbolAbsence, "README.md", 10, "`x` exists");
    let fresh = div(RuleId::SymbolAbsence, "README.md", 20, "`y` exists");

    let mut baseline: Vec<Identity> = Vec::new();
    baseline.push(Identity::from(&existing));

    let remaining = subtract(vec![existing, fresh.clone()], &baseline);
    assert_eq!(remaining, vec![fresh]);
}

#[test]
fn load_and_subtract_roundtrip() {
    let d = div(RuleId::LyingTest, "src/lib.rs", 42, "`t` is negative");
    let baseline = vec![Identity::from(&d)];
    let remaining = subtract(vec![d], &baseline);
    assert!(remaining.is_empty());
}

#[test]
fn subtract_with_empty_baseline_keeps_everything() {
    let a = div(RuleId::LyingTest, "a.rs", 1, "a");
    let b = div(RuleId::GhostCommand, "b.yml", 2, "b");
    let out = subtract(vec![a.clone(), b.clone()], &Vec::new());
    assert_eq!(out, vec![a, b]);
}

#[test]
fn identity_ignores_severity_and_reality() {
    let a = div(RuleId::LyingTest, "a.rs", 1, "same claim");
    let mut b = a.clone();
    b.severity = Severity::Notice;
    b.reality = "something else".into();
    let out = subtract(vec![b], &vec![Identity::from(&a)]);
    assert!(out.is_empty());
}

#[test]
fn identity_distinguishes_rule_file_line_and_claim() {
    let base = div(RuleId::LyingTest, "a.rs", 1, "claim");
    let baseline = vec![Identity::from(&base)];
    let other_rule = div(RuleId::LogicGap, "a.rs", 1, "claim");
    let other_file = div(RuleId::LyingTest, "b.rs", 1, "claim");
    let other_line = div(RuleId::LyingTest, "a.rs", 2, "claim");
    let other_claim = div(RuleId::LyingTest, "a.rs", 1, "another");
    let out = subtract(
        vec![other_rule, other_file, other_line, other_claim],
        &baseline,
    );
    assert_eq!(out.len(), 4);
}

#[test]
fn subtract_twice_is_subtract_once() {
    let a = div(RuleId::LyingTest, "a.rs", 1, "a");
    let b = div(RuleId::LyingTest, "a.rs", 2, "b");
    let baseline = vec![Identity::from(&a)];
    let once = subtract(vec![a, b], &baseline);
    let twice = subtract(once.clone(), &baseline);
    assert_eq!(once, twice);
}
