use spec_drift::config::{
    apply_config, extract_backticked_symbol, parse_rule_id, parse_severity, Config, RawConfig,
};
use spec_drift::domain::{Divergence, Location, RuleId, Severity};
use spec_drift::error::SpecDriftError;

fn make_div(rule: RuleId, file: &str) -> Divergence {
    Divergence {
        rule,
        severity: Severity::Critical,
        location: Location::new(file, 1),
        stated: "`legacy_shim` exists in the codebase".into(),
        reality: "not found".into(),
        risk: "x".into(),
        attribution: None,
    }
}

fn raw() -> RawConfig {
    RawConfig { severity: vec![], rules: vec![], paths: vec![], symbols: vec![] }
}

fn config_error(r: Result<Config, SpecDriftError>) -> String {
    match r {
        Err(SpecDriftError::Config { path, message }) => {
            assert_eq!(path, "spec-drift.toml");
            message
        }
        Err(other) => panic!("unexpected error {:?}", other),
        Ok(_) => panic!("expected an error"),
    }
}

#[test]
fn absent_config_loads_as_default() {
    let cfg = Config::empty();
    assert!(cfg.severities.is_empty());
    assert!(cfg.ignored_rules.is_empty());
    let cfg2 = raw().compile("spec-drift.toml").unwrap();
    assert!(cfg2.severities.is_empty());
    assert!(cfg2.ignored_rules.is_empty());
}

#[test]
fn parses_severity_overrides() {
    // [severity] symbol_absence = "warning"
    let mut r = raw();
    r.severity.push(("symbol_absence".into(), "warning".into()));
    let cfg = r.compile("spec-drift.toml").unwrap();
    assert_eq!(cfg.override_of(RuleId::SymbolAbsence), Some(Severity::Warning));
    assert_eq!(cfg.override_of(RuleId::LyingTest), None);
}

#[test]
fn rejects_unknown_severity_value() {
    let mut r = raw();
    r.severity.push(("symbol_absence".into(), "loud".into()));
    assert_eq!(
        config_error(r.compile("spec-drift.toml")),
        "unknown severity for `symbol_absence`: `loud`"
    );
}

#[test]
fn rejects_unknown_rule_name() {
    let mut r = raw();
    r.severity.push(("not_a_rule".into(), "warning".into()));
    assert_eq!(
        config_error(r.compile("spec-drift.toml")),
        "unknown rule in [severity]: `not_a_rule`"
    );
}

#[test]
fn rejects_unknown_ignored_rule_and_bad_glob() {
    let mut r = raw();
    r.rules.push("nope".into());
    assert_eq!(
        config_error(r.compile("spec-drift.toml")),
        "unknown rule in [ignore].rules: `nope`"
    );
    let mut g = raw();
    g.paths.push("docs/[".into());
    assert!(config_error(g.compile("spec-drift.toml")).starts_with("invalid glob in [ignore].paths: `docs/[`: "));
}

#[test]
fn suppresses_by_rule_and_by_path() {
    // [ignore] rules = ["outdated_logic"], paths = ["docs/legacy/**"], symbols = ["legacy_*"]
    let mut r = raw();
    r.rules.push("outdated_logic".into());
    r.paths.push("docs/legacy/**".into());
    r.symbols.push("legacy_*".into());
    let cfg = r.compile("spec-drift.toml").unwrap();
    let root = "/root";

    let by_rule = make_div(RuleId::OutdatedLogic, "/root/README.md");
    assert!(cfg.is_suppressed(&by_rule, root));

    let by_path = make_div(RuleId::SymbolAbsence, "/root/docs/legacy/api.md");
    assert!(cfg.is_suppressed(&by_path, root));

    let by_symbol = make_div(RuleId::SymbolAbsence, "/root/README.md");
    assert!(cfg.is_suppressed(&by_symbol, root));

    let kept = Divergence {
        location: Location::new("/root/src/lib.rs", 1),
        stated: "`keep_me` exists in the codebase".into(),
        ..make_div(RuleId::SymbolAbsence, "/root/src/lib.rs")
    };
    assert!(!cfg.is_suppressed(&kept, root));
}

#[test]
fn applies_severity_overrides_in_place() {
    let mut r = raw();
    r.severity.push(("symbol_absence".into(), "notice".into()));
    let cfg = r.compile("spec-drift.toml").unwrap();
    let mut divs = vec![make_div(RuleId::SymbolAbsence, "/root/a.md")];
    cfg.apply_severity_overrides(&mut divs);
    assert_eq!(divs[0].severity, Severity::Notice);
}

#[test]
fn later_severity_entry_wins() {
    let mut r = raw();
    r.severity.push(("lying_test".into(), "notice".into()));
    r.severity.push(("lying_test".into(), "warning".into()));
    let cfg = r.compile("spec-drift.toml").unwrap();
    assert_eq!(cfg.override_of(RuleId::LyingTest), Some(Severity::Warning));
}

#[test]
fn apply_config_drops_suppressed_and_overrides_the_rest() {
    let mut r = raw();
    r.rules.push("logic_gap".into());
    r.severity.push(("symbol_absence".into(), "notice".into()));
    let cfg = r.compile("spec-drift.toml").unwrap();
    let divs = vec![
        make_div(RuleId::LogicGap, "/root/a.rs"),
        make_div(RuleId::SymbolAbsence, "/root/b.md"),
        make_div(RuleId::LyingTest, "/root/c.rs"),
    ];
    let out = apply_config(divs, &cfg, "/root");
    assert_eq!(out.len(), 2);
    assert_eq!(out[0].rule, RuleId::SymbolAbsence);
    assert_eq!(out[0].severity, Severity::Notice);
    assert_eq!(out[1].severity, Severity::Critical);
}

#[test]
fn rule_and_severity_names_parse() {
    assert_eq!(parse_rule_id("env_mismatch"), Some(RuleId::EnvMismatch));
    assert_eq!(parse_rule_id("Env_Mismatch"), None);
    assert_eq!(parse_severity("critical"), Some(Severity::Critical));
    assert_eq!(parse_severity("loud"), None);
}

#[test]
fn backticked_symbol_strips_call_parens() {
    assert_eq!(extract_backticked_symbol("`foo()` exists").as_deref(), Some("foo"));
    assert_eq!(extract_backticked_symbol("a `b` c `d`").as_deref(), Some("b"));
    assert_eq!(extract_backticked_symbol("no ticks"), None);
    assert_eq!(extract_backticked_symbol("one `tick"), None);
}
