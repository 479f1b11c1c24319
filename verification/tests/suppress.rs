use spec_drift::context::SourceText;
use spec_drift::domain::{Divergence, Location, RuleId, Severity};
use spec_drift::suppress::{apply_inline_ignores, is_suppressed, line_silences_rule};

fn div(path: &str, line: u32) -> Divergence {
    Divergence {
        rule: RuleId::SymbolAbsence,
        severity: Severity::Critical,
        location: Location::new(path, line),
        stated: "x".into(),
        reality: "y".into(),
        risk: "z".into(),
        attribution: None,
    }
}

fn source(path: &str, text: &str) -> Vec<SourceText> {
    vec![SourceText { path: path.to_string(), text: text.to_string() }]
}

#[test]
fn generic_marker_on_previous_line_suppresses() {
    let f = "/tmp/t/README.md";
    let sources = source(
        f,
        "<!-- spec-drift: ignore-rule symbol_absence -->\nUse `NoSuchThing()` to start.\n",
    );
    let out = apply_inline_ignores(vec![div(f, 2)], &sources);
    assert!(out.is_empty());
}

#[test]
fn rust_allow_form_suppresses_lying_test() {
    let f = "/tmp/t/lib.rs";
    let sources = source(f, "#[allow(spec_drift::lying_test)]\n#[test]\nfn rejects_nothing() {}\n");
    let d = Divergence { rule: RuleId::LyingTest, ..div(f, 3) };
    assert!(apply_inline_ignores(vec![d], &sources).is_empty());
}

#[test]
fn marker_for_different_rule_does_not_suppress() {
    let f = "/tmp/t/x.md";
    let sources = source(f, "<!-- spec-drift: ignore-rule ghost_command -->\n`X()` missing.\n");
    let d = div(f, 2);
    assert_eq!(apply_inline_ignores(vec![d], &sources).len(), 1);
}

#[test]
fn unannotated_file_keeps_divergence() {
    let f = "/tmp/t/plain.md";
    let sources = source(f, "nothing to see\n");
    assert_eq!(apply_inline_ignores(vec![div(f, 1)], &sources).len(), 1);
}

#[test]
fn missing_file_is_not_an_error() {
    let out = apply_inline_ignores(vec![div("/nope/nope.md", 1)], &Vec::new());
    // Falls back to "not suppressed" when the file can't be read.
    assert_eq!(out.len(), 1);
}

#[test]
fn marker_reaches_three_lines_up_but_not_four() {
    let f = "a.md";
    let text = "<!-- spec-drift: ignore-rule symbol_absence -->\nb\nc\nd\ne\n";
    let sources = source(f, text);
    assert!(is_suppressed(&div(f, 4), &sources));
    assert!(!is_suppressed(&div(f, 5), &sources));
    assert!(is_suppressed(&div(f, 1), &sources));
    assert!(!is_suppressed(&div(f, 0), &sources));
}

#[test]
fn line_silences_rule_needs_the_rule_name() {
    assert!(line_silences_rule("# spec-drift: ignore-rule env_mismatch", RuleId::EnvMismatch));
    assert!(!line_silences_rule("# spec-drift: ignore-rule env_mismatch", RuleId::LyingTest));
    assert!(!line_silences_rule("spec_drift::lying_test", RuleId::LyingTest));
}

#[test]
fn unsuppressed_divergences_keep_their_order() {
    let f = "a.md";
    let sources = source(f, "<!-- spec-drift: ignore-rule symbol_absence -->\nb\n\n\n\n\n\nx\n");
    let out = apply_inline_ignores(vec![div(f, 8), div(f, 2), div(f, 7)], &sources);
    assert_eq!(out, vec![div(f, 8), div(f, 7)]);
}
