use spec_drift::domain::{Attribution, Divergence, Location, RuleId, Severity};
use spec_drift::reporters::{
    level_for, sarif_rule_ids, sarif_start_line, FixPromptReporter, HumanReporter, Reporter,
};

fn div_with(attr: Option<Attribution>) -> Divergence {
    Divergence {
        rule: RuleId::SymbolAbsence,
        severity: Severity::Critical,
        location: Location::new("README.md", 42),
        stated: "x".into(),
        reality: "y".into(),
        risk: "z".into(),
        attribution: attr,
    }
}

fn div() -> Divergence {
    Divergence {
        rule: RuleId::SymbolAbsence,
        severity: Severity::Critical,
        location: Location::new("README.md", 42),
        stated: "`Client::new` exists".into(),
        reality: "no `new` found in sources".into(),
        risk: "docs lie".into(),
        attribution: None,
    }
}

#[test]
fn renders_blame_line_when_attribution_present() {
    let out = HumanReporter.render(&[div_with(Some(Attribution {
        commit: "abc1234".into(),
        author: "Ada".into(),
        date: "2024-01-02".into(),
        summary: "Write README".into(),
    }))]);
    assert!(out.contains("- Blame: abc1234 Ada (2024-01-02): Write README"));
}

#[test]
fn omits_blame_line_when_attribution_missing() {
    let out = HumanReporter.render(&[div_with(None)]);
    assert!(!out.contains("- Blame:"));
}

#[test]
fn human_report_names_rule_location_and_glyph() {
    let out = HumanReporter.render(&[div_with(None)]);
    assert!(out.starts_with("📉 SPEC DRIFT REPORT: [1 Divergence Found]\n\n"));
    assert!(out.contains("❌ CRITICAL: symbol_absence\n- File: README.md (Line 42)\n"));
    assert!(out.contains("- Stated: x\n- Reality: y\n- Risk: z\n"));
}

#[test]
fn human_report_counts_plural_and_empty() {
    let two = HumanReporter.render(&[div_with(None), div_with(None)]);
    assert!(two.starts_with("📉 SPEC DRIFT REPORT: [2 Divergences Found]"));
    assert_eq!(HumanReporter.render(&[]), "✅ SPEC DRIFT REPORT: no divergences found.\n");
}

#[test]
fn empty_input_returns_short_noop_brief() {
    let out = FixPromptReporter.render(&[]);
    assert!(out.contains("No divergences"));
}

#[test]
fn renders_task_block_per_divergence() {
    let out = FixPromptReporter.render(&[div(), div()]);
    assert!(out.contains("## Task 1"));
    assert!(out.contains("## Task 2"));
    assert!(out.contains("`README.md:42`"));
    assert!(out.contains("symbol_absence"));
}

#[test]
fn mentions_the_three_resolution_options() {
    let out = FixPromptReporter.render(&[div()]);
    assert!(out.contains("Update the spec"));
    assert!(out.contains("Update the code"));
    assert!(out.contains("silence the rule"));
}

#[test]
fn maps_severity_to_sarif_level() {
    assert_eq!(level_for(Severity::Critical), "error");
    assert_eq!(level_for(Severity::Warning), "warning");
    assert_eq!(level_for(Severity::Notice), "note");
}

#[test]
fn sarif_start_line_is_at_least_one() {
    assert_eq!(sarif_start_line(0), 1);
    assert_eq!(sarif_start_line(7), 7);
}

#[test]
fn deduplicates_rule_entries() {
    let mut other = div();
    other.rule = RuleId::LyingTest;
    let ids = sarif_rule_ids(&[div(), other, div()]);
    assert_eq!(ids, vec![RuleId::SymbolAbsence, RuleId::LyingTest]);
}

#[test]
fn empty_input_still_valid_sarif() {
    assert!(sarif_rule_ids(&[]).is_empty());
}
